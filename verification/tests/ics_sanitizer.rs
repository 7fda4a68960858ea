use qrsnap::ics_sanitizer::{is_valid_datetime, parse_vevent, sanitize_text, to_ics, SanitizedEvent};

#[test]
fn test_basic_event() {
    let raw = "BEGIN:VEVENT\nSUMMARY:Standup\nDTSTART:20260315T100000Z\nEND:VEVENT";
    let evt = parse_vevent(raw).unwrap();
    assert_eq!(evt.summary.as_deref(), Some("Standup"));
    assert_eq!(evt.dtstart.as_deref(), Some("20260315T100000Z"));
}

#[test]
fn test_strips_attach_and_valarm() {
    let raw = "BEGIN:VEVENT\nSUMMARY:Test\nATTACH:https://evil.com\nVALARM:DISPLAY\nEND:VEVENT";
    let evt = parse_vevent(raw).unwrap();
    let ics = to_ics(&evt);
    assert!(!ics.contains("ATTACH"));
    assert!(!ics.contains("VALARM"));
}

#[test]
fn test_strips_html_in_description() {
    let raw = "BEGIN:VEVENT\nDESCRIPTION:<script>alert(1)</script>Hello\nEND:VEVENT";
    let evt = parse_vevent(raw).unwrap();
    assert_eq!(evt.description.as_deref(), Some("alert(1)Hello"));
}

#[test]
fn test_truncates_long_summary() {
    let long = "A".repeat(300);
    let raw = format!("BEGIN:VEVENT\nSUMMARY:{long}\nEND:VEVENT");
    let evt = parse_vevent(&raw).unwrap();
    assert_eq!(evt.summary.as_ref().unwrap().len(), 256);
}

#[test]
fn test_invalid_datetime_skipped() {
    let raw = "BEGIN:VEVENT\nDTSTART:not-a-date-at-all!!\nEND:VEVENT";
    let evt = parse_vevent(raw).unwrap();
    assert!(evt.dtstart.is_none());
}

#[test]
fn no_vevent_gives_none() {
    assert!(parse_vevent("SUMMARY:x").is_none());
    assert!(parse_vevent("").is_none());
}

#[test]
fn full_ics_text() {
    let raw = "BEGIN:VEVENT\r\n  SUMMARY:Lunch\r\nDTSTART:20260315\r\nDTEND:20260315T130000Z\r\nLOCATION:Caf\u{e9}\r\nURL:http://x\r\nEND:VEVENT\r\n";
    let evt = parse_vevent(raw).unwrap();
    let ics = to_ics(&evt);
    assert_eq!(
        ics,
        "BEGIN:VCALENDAR\r\nVERSION:2.0\r\nPRODID:-//QRSnap//EN\r\nBEGIN:VEVENT\r\nSUMMARY:Lunch\r\nDTSTART:20260315\r\nDTEND:20260315T130000Z\r\nLOCATION:Caf\u{e9}\r\nEND:VEVENT\r\nEND:VCALENDAR"
    );
}

#[test]
fn empty_event_ics() {
    let e = SanitizedEvent { summary: None, dtstart: None, dtend: None, location: None, description: None };
    assert_eq!(
        to_ics(&e),
        "BEGIN:VCALENDAR\r\nVERSION:2.0\r\nPRODID:-//QRSnap//EN\r\nBEGIN:VEVENT\r\nEND:VEVENT\r\nEND:VCALENDAR"
    );
}

#[test]
fn later_lines_override() {
    let raw = "BEGIN:VEVENT\nSUMMARY:a\nSUMMARY:b\nDTSTART:20260101\nDTSTART:bad\nEND:VEVENT";
    let evt = parse_vevent(raw).unwrap();
    assert_eq!(evt.summary.as_deref(), Some("b"));
    assert_eq!(evt.dtstart.as_deref(), Some("20260101"));
}

#[test]
fn sanitize_rules() {
    assert_eq!(sanitize_text("a<b>c>d<e", 100), "acd");
    assert_eq!(sanitize_text("x\u{7}y\nz\u{85}", 100), "xyz");
    assert_eq!(sanitize_text("abcdef", 3), "abc");
    // truncation never splits a character nor exceeds the byte limit
    assert_eq!(sanitize_text("aé", 2), "a");
    assert_eq!(sanitize_text("aéb", 2), "a");
    assert_eq!(sanitize_text("aéb", 3), "aé");
    assert_eq!(sanitize_text("abc", 0), "");
    assert_eq!(sanitize_text("<b>hi</b>\u{7}", 10), "hi");
}

#[test]
fn datetime_rules() {
    assert!(is_valid_datetime("20260315"));
    assert!(is_valid_datetime("  20260315T100000Z "));
    assert!(is_valid_datetime("2026-03-15T10:00:00Z"));
    assert!(!is_valid_datetime("2026031"));
    assert!(!is_valid_datetime("20260315T100000Z+01:00"));
    assert!(!is_valid_datetime("2026 0315"));
    assert!(!is_valid_datetime("2026031é"));
}

#[test]
fn event_fields_never_hold_line_feeds() {
    let raw = "BEGIN:VEVENT\nDESCRIPTION:line one\u{b}\rline two\nEND:VEVENT";
    let evt = parse_vevent(raw).unwrap();
    let d = evt.description.unwrap();
    assert!(!d.contains('\n'));
    assert!(!d.contains('\r'));
    assert_eq!(d, "line oneline two");
}
