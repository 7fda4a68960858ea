use qrsnap::capture::{file_outcome, status_outcome, temp_file_failure, CaptureError};
use qrsnap::commands::{capture_shows_permission, parse_qr_content, scan_mode, scan_outcome, ScanMode};
use qrsnap::keychain::{check_store, lookup_result};
use qrsnap::tray::menu_event_name;

#[test]
fn test_ssid_too_long_rejected() {
    let long = "A".repeat(33);
    assert!(check_store(&long, "pass").is_err());
}

#[test]
fn test_password_too_long_rejected() {
    let long = "A".repeat(64);
    assert!(check_store("net", &long).is_err());
}

#[test]
fn keychain_limits_are_bytes() {
    assert_eq!(check_store(&"A".repeat(32), &"p".repeat(63)), Ok(()));
    assert_eq!(check_store(&"é".repeat(17), "x").unwrap_err(), "SSID too long (max 32 bytes)");
    assert_eq!(check_store("n", &"p".repeat(64)).unwrap_err(), "Password too long (max 63 chars)");
}

#[test]
fn keychain_lookup() {
    assert_eq!(lookup_result(false, b"secret".to_vec()), Ok(None));
    assert_eq!(lookup_result(true, b"  secret\n".to_vec()), Ok(Some("secret".to_string())));
    assert_eq!(lookup_result(true, vec![0xff, 0xfe]).unwrap_err(), "Keychain: invalid UTF-8");
}

#[test]
fn scan_modes() {
    assert_eq!(scan_mode("region"), Ok(ScanMode::Region));
    assert_eq!(scan_mode("window"), Ok(ScanMode::Window));
    assert_eq!(scan_mode("full").unwrap_err(), "Invalid scan mode: full");
    assert_eq!(ScanMode::Region.capture_flag(), "-i");
    assert_eq!(ScanMode::Window.capture_flag(), "-iw");
}

#[test]
fn scan_outcomes() {
    let ok = scan_outcome(Ok(()), "/tmp/a.png".to_string(), "region".to_string()).unwrap();
    assert_eq!(ok.image_path, "/tmp/a.png");
    assert_eq!(ok.source_type, "region");
    assert_eq!(scan_outcome(Err(CaptureError::Cancelled), String::new(), String::new()).unwrap_err(), "cancelled");
    assert_eq!(
        scan_outcome(Err(CaptureError::PermissionDenied), String::new(), String::new()).unwrap_err(),
        "permission_denied"
    );
    assert_eq!(
        scan_outcome(Err(CaptureError::Failed("boom".to_string())), String::new(), String::new()).unwrap_err(),
        "boom"
    );
}

#[test]
fn capture_steps() {
    assert!(status_outcome(Ok(true)).is_ok());
    assert!(matches!(status_outcome(Ok(false)), Err(CaptureError::Cancelled)));
    match status_outcome(Err("no such file".to_string())) {
        Err(CaptureError::Failed(m)) => assert_eq!(m, "screencapture: no such file"),
        _ => panic!("expected a failure"),
    }
    assert!(matches!(file_outcome(Ok(0)), Err(CaptureError::Cancelled)));
    assert!(file_outcome(Ok(10)).is_ok());
    match file_outcome(Err("gone".to_string())) {
        Err(CaptureError::Failed(m)) => assert_eq!(m, "Read metadata: gone"),
        _ => panic!("expected a failure"),
    }
    assert_eq!(temp_file_failure("disk full").message(), "Capture failed: Temp file: disk full");
    assert_eq!(CaptureError::Cancelled.message(), "Capture cancelled");
    assert_eq!(CaptureError::PermissionDenied.message(), "Screen Recording permission denied");
}

#[test]
fn permission_probe() {
    assert!(capture_shows_permission(true, 1025));
    assert!(!capture_shows_permission(true, 1024));
    assert!(!capture_shows_permission(false, 5000));
}

#[test]
fn parse_command_never_fails() {
    let r = parse_qr_content("tel:123".to_string()).unwrap();
    assert_eq!(r.content_type, "phone");
}

#[test]
fn menu_events() {
    assert_eq!(menu_event_name("scan_region").as_deref(), Some("scan-region"));
    assert_eq!(menu_event_name("scan_window").as_deref(), Some("scan-window"));
    assert_eq!(menu_event_name("history").as_deref(), Some("show-history"));
    assert_eq!(menu_event_name("settings").as_deref(), Some("show-settings"));
    assert_eq!(menu_event_name("about").as_deref(), Some("show-about"));
    assert_eq!(menu_event_name("quit"), None);
}

#[test]
fn shortcut_events() {
    assert_eq!(qrsnap::shortcuts::shortcut_event(false, true, false, false), None);
    assert_eq!(qrsnap::shortcuts::shortcut_event(true, true, true, false).as_deref(), Some("scan-region"));
    assert_eq!(qrsnap::shortcuts::shortcut_event(true, false, true, true).as_deref(), Some("scan-window"));
    assert_eq!(qrsnap::shortcuts::shortcut_event(true, false, false, true).as_deref(), Some("show-history"));
    assert_eq!(qrsnap::shortcuts::shortcut_event(true, false, false, false), None);
}
