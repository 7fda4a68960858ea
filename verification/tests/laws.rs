use qrsnap::content_type::{is_email, is_phone, parse};
use qrsnap::history::{add_entry, ScanEntry};
use qrsnap::ics_sanitizer::{parse_vevent, sanitize_text, to_ics};
use qrsnap::keychain::check_store;
use qrsnap::security::{is_valid_email, is_valid_phone, mailto_target, sms_target};

#[test]
fn accepted_wifi_is_storable() {
    let r = parse("WIFI:T:WPA2;S:Café Net;P:correct horse battery;H:true;;");
    assert_eq!(r.content_type, "wifi");
    let f = r.fields.unwrap();
    let ssid = f.get("ssid").unwrap();
    assert_eq!(ssid, "Café Net");
    assert_eq!(f.get("hidden").unwrap(), "true");
    let password = &r.actions[1].payload;
    assert_eq!(check_store(&ssid, password), Ok(()));
}

#[test]
fn bare_email_and_phone_pass_opener_checks() {
    for s in ["user@domain.com", "a.b@c.d.e", "x@y.z"] {
        assert!(is_email(s));
        assert!(is_valid_email(s));
    }
    // the opener's check is looser than the parser's
    assert!(!is_email("user@.com"));
    assert!(is_valid_email("user@.com"));
    for s in ["+1 (555) 123-4567", "5551234", "123456789012345"] {
        assert!(is_phone(s));
        assert!(is_valid_phone(s));
    }
}

#[test]
fn encoded_parts_hold_only_safe_chars() {
    let uri = mailto_target("a@b.com", Some("x&y=z?#\u{1F600}\t/".to_string())).unwrap();
    let enc = uri.strip_prefix("mailto:a@b.com?subject=").unwrap();
    assert_eq!(enc, "x%26y%3Dz%3F%23%F0%9F%98%80%09%2F");
    assert!(enc.chars().all(|c| c.is_ascii_alphanumeric() || "-._~%".contains(c)));
    let sms = sms_target("5551234567", Some("hi & bye".to_string())).unwrap();
    assert_eq!(sms, "sms:5551234567?body=hi%20%26%20bye");
}

#[test]
fn known_content_types() {
    let known = ["error", "wifi", "vcard", "event", "email", "phone", "sms", "geo", "url", "text"];
    for raw in ["", "WIFI:", "WIFI:T:bad;;", "geo:", "sms:", "tel:", "mailto:", "www.", "a@b.c", "1234567", "x"] {
        let r = parse(raw);
        assert!(known.contains(&r.content_type.as_str()), "{raw}");
        assert!(!r.actions.is_empty());
    }
}

#[test]
fn ics_lines_are_allowlisted() {
    let raw = "BEGIN:VEVENT\nSUMMARY:a\u{0}b<i>c</i>\nX-EVIL:1\nORGANIZER:me\nDTSTART:\r20260315\nEND:VEVENT";
    let evt = parse_vevent(raw).unwrap();
    assert_eq!(evt.summary.as_deref(), Some("abc"));
    // the date-time is checked and kept trimmed
    assert_eq!(evt.dtstart.as_deref(), Some("20260315"));
    let ics = to_ics(&evt);
    assert!(!ics.contains('\u{0}'));
    for line in ics.split('\n') {
        let line = line.trim_end_matches('\r');
        let ok = [
            "BEGIN:VCALENDAR",
            "VERSION:2.0",
            "PRODID:-//QRSnap//EN",
            "BEGIN:VEVENT",
            "SUMMARY:",
            "DTSTART:",
            "DTEND:",
            "LOCATION:",
            "DESCRIPTION:",
            "END:VEVENT",
            "END:VCALENDAR",
        ]
        .iter()
        .any(|p| line.starts_with(p));
        assert!(ok, "{line:?}");
    }
    assert!(!ics.contains("X-EVIL"));
    assert!(!ics.contains("ORGANIZER"));
}

fn entry(id: &str) -> ScanEntry {
    ScanEntry {
        id: id.to_string(),
        scanned_at: String::new(),
        result: String::new(),
        result_type: String::new(),
        parsed_data: None,
        source_type: String::new(),
        source_name: None,
        thumbnail_file: None,
    }
}

#[test]
fn add_loses_nothing() {
    let old: Vec<ScanEntry> = (0..105).map(|i| entry(&i.to_string())).collect();
    let u = add_entry(old, entry("n"));
    let mut all: Vec<String> = u.entries.iter().map(|e| e.id.clone()).collect();
    all.extend(u.removed.iter().rev().map(|e| e.id.clone()));
    let mut expected = vec!["n".to_string()];
    expected.extend((0..105).map(|i| i.to_string()));
    assert_eq!(all, expected);
    assert_eq!(u.entries.len(), 100);
}

#[test]
fn event_payload_opens_as_calendar() {
    let raw = "BEGIN:VEVENT\nSUMMARY:Review\nEND:VEVENT";
    assert_eq!(parse(raw).content_type, "event");
    let ics = qrsnap::security::calendar_ics(raw).unwrap();
    assert!(ics.contains("SUMMARY:Review"));
}

#[test]
fn wifi_fields_round_trip() {
    // keys S, P, X with values that need escaping
    let body = "S:My\\;Net\\,1;P:a\\\\b\\:c;X:;";
    let f = qrsnap::content_type::parse_wifi_fields(body);
    assert_eq!(
        f.entries,
        vec![
            ("S".to_string(), "My;Net,1".to_string()),
            ("P".to_string(), "a\\b:c".to_string()),
            ("X".to_string(), String::new()),
        ]
    );
    assert_eq!(qrsnap::content_type::parse_wifi_fields("").entries.len(), 0);
}

#[test]
fn sanitize_is_idempotent() {
    for (s, m) in [("a<b>é\u{7}xyz", 4usize), ("<<>>abc>def", 100), ("ééé", 5), ("plain", 0)] {
        let once = sanitize_text(s, m);
        assert_eq!(sanitize_text(&once, m), once);
        assert!(once.len() <= m);
    }
}

#[test]
fn datetimes_are_stored_trimmed() {
    let evt = parse_vevent("BEGIN:VEVENT\nDTSTART:\t20260315T100000Z\nDTEND: \r20260316 \nEND:VEVENT").unwrap();
    assert_eq!(evt.dtstart.as_deref(), Some("20260315T100000Z"));
    assert_eq!(evt.dtend.as_deref(), Some("20260316"));
}

#[test]
fn ics_round_trip() {
    let e = qrsnap::ics_sanitizer::SanitizedEvent {
        summary: Some(" Team sync".to_string()),
        dtstart: Some("20260315T100000Z".to_string()),
        dtend: Some("2026-03-15".to_string()),
        location: Some("Room 4 (Café)".to_string()),
        description: None,
    };
    let back = parse_vevent(&to_ics(&e)).unwrap();
    assert_eq!(back.summary, e.summary);
    assert_eq!(back.dtstart, e.dtstart);
    assert_eq!(back.dtend, e.dtend);
    assert_eq!(back.location, e.location);
    assert_eq!(back.description, e.description);
}

#[test]
fn sanitize_is_longest_fitting_prefix() {
    let inputs = ["<b>héllo</b> wörld\u{7}!", "a<x>b€c😀d", "plain text", "<<>>é"];
    for s in inputs {
        let full = sanitize_text(s, usize::MAX);
        for m in 0..(full.len() + 3) {
            let r = sanitize_text(s, m);
            assert!(r.len() <= m);
            assert!(full.starts_with(r.as_str()));
            let next = full[r.len()..].chars().next();
            if let Some(c) = next {
                assert!(r.len() + c.len_utf8() > m);
            } else {
                assert_eq!(r, full);
            }
        }
    }
    assert_eq!(sanitize_text("a<x>b€c", 4), "ab");
    assert_eq!(sanitize_text("a<x>b€c", 5), "ab€");
}
