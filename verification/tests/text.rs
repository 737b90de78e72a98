use rdtool::text::{join_strs, str_eq, str_le, trim_str};
use rdtool::webdav::{rclone_config, setup_script};

#[test]
fn trimming_unicode_white_space() {
    assert_eq!(trim_str("  a b \t\n"), "a b");
    assert_eq!(trim_str("\u{3000}x\u{a0}"), "x");
    assert_eq!(trim_str("   "), "");
}

#[test]
fn string_order_and_equality() {
    assert!(str_le("01:00", "01:00"));
    assert!(str_le("01:00", "01:01"));
    assert!(!str_le("02:00", "01:59"));
    assert!(str_le("ab", "abc"));
    assert!(str_le("é", "ê"));
    assert!(str_eq("é", "é"));
    assert!(!str_eq("a", "ab"));
}

#[test]
fn rclone_configuration_text() {
    assert_eq!(
        rclone_config("me@mail", "OBSCURED"),
        "[realdebrid]\ntype = webdav\nurl = https://dav.real-debrid.com/\nvendor = other\nuser = me@mail\npass = OBSCURED\n"
    );
}

#[test]
fn setup_script_text() {
    let s = setup_script("/tmp/a.conf", "/tmp/b.service");
    assert!(s.starts_with("#!/bin/sh\nmkdir -p /root/.config/rclone\ncp /tmp/a.conf /root/.config/rclone/rclone.conf\n"));
    assert!(s.contains("cp /tmp/b.service /etc/systemd/system/realdebrid.service\n"));
    assert!(s.ends_with("systemctl enable --now realdebrid.service\n"));
}

#[test]
fn joining_lines() {
    let parts = vec!["a".to_string(), "".to_string(), "bc".to_string()];
    assert_eq!(join_strs(&parts, '\n'), "a\n\nbc");
    assert_eq!(join_strs(&vec!["only".to_string()], ','), "only");
    assert_eq!(join_strs(&Vec::new(), '\n'), "");
}
