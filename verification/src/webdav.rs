//! The WebDAV mount: its state and the configuration texts it writes.

use vstd::prelude::*;

use crate::text::append_str;

verus! {

/// What is installed and running of the WebDAV mount.
#[derive(Debug)]
pub struct WebDavStatus {
    pub platform: String,
    pub rclone_installed: bool,
    pub service_installed: bool,
    pub service_active: bool,
    pub is_mounted: bool,
}

/// What the mount section offers for the state of the service.
#[derive(Debug, Clone, Copy, PartialEq, Eq, Structural)]
pub enum MountControls {
    /// The form that installs the service and mounts the remote.
    Setup,
    /// A start button and an uninstall button.
    StartOrUninstall,
    /// A stop button and an uninstall button.
    StopOrUninstall,
}

/// The setup form while the service is not installed; then a stop button
/// while it runs, else a start button, each beside an uninstall button.
pub open spec fn controls_for(installed: bool, active: bool) -> MountControls {
    if !installed {
        MountControls::Setup
    } else if active {
        MountControls::StopOrUninstall
    } else {
        MountControls::StartOrUninstall
    }
}

/// What the mount section offers for the given state.
pub fn mount_controls(status: &WebDavStatus) -> (c: MountControls)
    ensures
        c == controls_for(status.service_installed, status.service_active),
{
    if !status.service_installed {
        MountControls::Setup
    } else if status.service_active {
        MountControls::StopOrUninstall
    } else {
        MountControls::StartOrUninstall
    }
}

/// How the state of the service is shown.
pub open spec fn service_text(installed: bool, active: bool) -> Seq<char> {
    if active {
        "service active"@
    } else if installed {
        "service stopped"@
    } else {
        "service not installed"@
    }
}

/// How the state of the service is shown.
pub fn service_label(status: &WebDavStatus) -> (s: &'static str)
    ensures
        s@ == service_text(status.service_installed, status.service_active),
{
    if status.service_active {
        "service active"
    } else if status.service_installed {
        "service stopped"
    } else {
        "service not installed"
    }
}

/// How the state of the mount is shown.
pub open spec fn mount_text(mounted: bool) -> Seq<char> {
    if mounted {
        "mounted"@
    } else {
        "not mounted"@
    }
}

/// How the state of the mount is shown.
pub fn mount_label(status: &WebDavStatus) -> (s: &'static str)
    ensures
        s@ == mount_text(status.is_mounted),
{
    if status.is_mounted {
        "mounted"
    } else {
        "not mounted"
    }
}

/// The rclone remote `realdebrid` for the Real-Debrid WebDAV server with the
/// user and the obscured password.
pub open spec fn rclone_config_text(user: Seq<char>, pass: Seq<char>) -> Seq<char> {
    "[realdebrid]\ntype = webdav\nurl = https://dav.real-debrid.com/\nvendor = other\nuser = "@ + user
        + "\npass = "@ + pass + "\n"@
}

/// The rclone configuration of the remote.
pub fn rclone_config(username: &str, enc_pass: &str) -> (c: String)
    ensures
        c@ == rclone_config_text(username@, enc_pass@),
{
    let mut c = String::new();
    append_str(&mut c, "[realdebrid]\ntype = webdav\nurl = https://dav.real-debrid.com/\nvendor = other\nuser = ");
    append_str(&mut c, username);
    append_str(&mut c, "\npass = ");
    append_str(&mut c, enc_pass);
    append_str(&mut c, "\n");
    assert(c@ =~= rclone_config_text(username@, enc_pass@));
    c
}

/// The setup script run as root: it installs the root rclone configuration
/// and the systemd unit from the given temporary files and starts the mount.
pub open spec fn setup_script_text(root_conf: Seq<char>, unit: Seq<char>) -> Seq<char> {
    "#!/bin/sh\nmkdir -p /root/.config/rclone\ncp "@ + root_conf
        + " /root/.config/rclone/rclone.conf\nchmod 600 /root/.config/rclone/rclone.conf\nmkdir -p /mnt/RealDebrid\nchmod 755 /mnt/RealDebrid\ncp "@
        + unit
        + " /etc/systemd/system/realdebrid.service\nsystemctl daemon-reload\nsystemctl enable --now realdebrid.service\n"@
}

/// The setup script for the given temporary files.
pub fn setup_script(root_conf_path: &str, unit_path: &str) -> (s: String)
    ensures
        s@ == setup_script_text(root_conf_path@, unit_path@),
{
    let mut s = String::new();
    append_str(&mut s, "#!/bin/sh\nmkdir -p /root/.config/rclone\ncp ");
    append_str(&mut s, root_conf_path);
    append_str(&mut s, " /root/.config/rclone/rclone.conf\nchmod 600 /root/.config/rclone/rclone.conf\nmkdir -p /mnt/RealDebrid\nchmod 755 /mnt/RealDebrid\ncp ");
    append_str(&mut s, unit_path);
    append_str(&mut s, " /etc/systemd/system/realdebrid.service\nsystemctl daemon-reload\nsystemctl enable --now realdebrid.service\n");
    assert(s@ =~= setup_script_text(root_conf_path@, unit_path@));
    s
}

} // verus!
